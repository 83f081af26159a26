//! The height grid: a square array of quantized elevation samples whose side
//! length is a power of two.  Lookups clamp out-of-range coordinates to the
//! last row or column, because midpoint arithmetic can legitimately overshoot
//! the border by one unit.

use crate::rtin::Vector2u32;
use crate::u32_extensions::spec_is_pow2;
use vstd::prelude::*;

verus! {

/// A square grid of elevation samples, `side_length x side_length`.
pub struct HeightGrid {
    samples: Vec<u16>,
    side_length: u32,
}

impl HeightGrid {
    /// The sample storage, row-major.
    pub closed spec fn spec_samples(&self) -> Seq<u16> {
        self.samples@
    }

    /// Side length of the sample grid.
    pub closed spec fn spec_side_length(&self) -> u32 {
        self.side_length
    }

    /// Structural validity: a square sample count for a power-of-two side
    /// length small enough for the 32-bit triangle addressing.
    pub open spec fn wf(&self) -> bool {
        &&& self.spec_samples().len() == self.spec_side_length() * self.spec_side_length()
        &&& spec_is_pow2(self.spec_side_length() as nat)
        &&& 2 <= self.spec_side_length() <= 32768
    }

    /// The sample at `(x, y)`, with both coordinates clamped to the grid.
    pub open spec fn spec_sample(&self, x: int, y: int) -> u16 {
        let side = self.spec_side_length() as int;
        let cx = if x >= side {
            side - 1
        } else {
            x
        };
        let cy = if y >= side {
            side - 1
        } else {
            y
        };
        self.spec_samples()[cy * side + cx]
    }

    /// Builds a height grid after checking the preconditions of the
    /// addressing scheme: the sample count must be `side_length` squared and
    /// `side_length` must be a power of two between 2 and 32768.
    pub fn new(samples: Vec<u16>, side_length: u32) -> (r: Option<HeightGrid>)
        ensures
            r is Some <==> {
                &&& samples@.len() == side_length * side_length
                &&& spec_is_pow2(side_length as nat)
                &&& 2 <= side_length <= 32768
            },
            r is Some ==> {
                &&& r->0.spec_samples() == samples@
                &&& r->0.spec_side_length() == side_length
                &&& r->0.wf()
            },
    {
        if side_length < 2 || side_length > 32768 {
            return None;
        }
        if !crate::u32_extensions::is_power_of_2(side_length) {
            return None;
        }
        proof {
            assert(side_length * side_length <= 0x4000_0000) by (nonlinear_arith)
                requires
                    side_length <= 32768,
            ;
        }
        let expected = (side_length as usize) * (side_length as usize);
        if samples.len() != expected {
            return None;
        }
        Some(HeightGrid { samples, side_length })
    }

    /// The side length, also the width and height of the sample square.
    pub fn width(&self) -> (r: u32)
        ensures
            r == self.spec_side_length(),
    {
        self.side_length
    }

    /// Same as `width`: the grid is square.
    pub fn height(&self) -> (r: u32)
        ensures
            r == self.spec_side_length(),
    {
        self.side_length
    }
}

/// The quantized elevation at a grid vector, with clamped coordinates.
pub fn get_height(height_map: &HeightGrid, vector: Vector2u32) -> (r: u16)
    requires
        height_map.wf(),
    ensures
        r == height_map.spec_sample(vector.x as int, vector.y as int),
{
    let side = height_map.width();

    let mut a = vector.x;
    if a >= side {
        a = side - 1;
    }

    let mut b = vector.y;
    if b >= side {
        b = side - 1;
    }

    proof {
        assert((b * side + a) < side * side && side * side <= 0x4000_0000) by (nonlinear_arith)
            requires
                a < side,
                b < side,
                side <= 32768,
        ;
    }
    height_map.samples[(b as usize) * (side as usize) + (a as usize)]
}

} // verus!
