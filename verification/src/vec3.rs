//! The three coordinate axes.
use crate::rng::draw_below_u8;
use rand::rngs::SmallRng;
use vstd::prelude::*;

verus! {

/// One of the three coordinate axes.
#[derive(Copy, Clone, Debug, PartialEq, Eq, Structural)]
pub enum Axis {
    X,
    Y,
    Z,
}

impl Axis {
    /// The position of the axis among the three: 0, 1 or 2.
    pub open spec fn index(self) -> int {
        match self {
            Axis::X => 0,
            Axis::Y => 1,
            Axis::Z => 2,
        }
    }

    /// The axis at position `n`.
    pub fn from_index(n: u8) -> (axis: Axis)
        requires
            n < 3,
        ensures
            axis.index() == n,
    {
        if n == 0 {
            Axis::X
        } else if n == 1 {
            Axis::Y
        } else {
            Axis::Z
        }
    }

    /// Draws an axis from the stream: the axis at the position drawn from the
    /// three. Which one comes depends on the stream alone.
    pub fn sample(rng: &mut SmallRng) -> Axis {
        let n: u8 = draw_below_u8(rng, 3);
        Axis::from_index(n)
    }
}

} // verus!
