use vstd::prelude::*;

verus! {

/// The most pins one ball can knock down.
pub const MAX_PINS: i32 = 10;

/// One slot of a frame.
#[derive(Debug, Clone, Copy, PartialEq, Eq, Structural)]
pub enum Shot {
    /// A ball that was thrown, with the pins it knocked down.
    Pins(i32),
    /// The second ball of a frame that is not thrown, because the first was a strike.
    X,
    /// A ball that has not been thrown yet.
    NotYet,
}

impl Shot {
    /// The pins this slot contributes to a score: its count, or 0 for either marker.
    pub open spec fn pins(self) -> int {
        match self {
            Shot::Pins(n) => n as int,
            Shot::X => 0,
            Shot::NotYet => 0,
        }
    }

    /// A slot is valid when a pin count lies between 0 and `MAX_PINS`.
    pub open spec fn wf(self) -> bool {
        match self {
            Shot::Pins(n) => 0 <= n <= MAX_PINS,
            Shot::X => true,
            Shot::NotYet => true,
        }
    }

    /// Whether a ball was thrown into this slot.
    pub open spec fn is_thrown(self) -> bool {
        self is Pins
    }

    /// The pins this slot adds to a score.
    pub fn to_score(&self) -> (score: i32)
        ensures
            score == self.pins(),
    {
        match self {
            Shot::Pins(s) => *s,
            Shot::X => 0,
            Shot::NotYet => 0,
        }
    }
}

} // verus!
