use vstd::prelude::*;

verus! {

/// The movement input of a player: one of the eight compass directions, or none.
#[derive(Clone, Copy, Debug, PartialEq, Eq, Structural)]
pub enum Movement {
    Up,
    UpRight,
    Right,
    DownRight,
    Down,
    DownLeft,
    Left,
    UpLeft,
    Stop,
}

impl Movement {
    /// The direction as a pair of signs on the plane, `x` growing to the right and `y`
    /// growing downwards.
    pub open spec fn spec_components(self) -> (int, int) {
        match self {
            Movement::Up => (0, -1),
            Movement::UpRight => (1, -1),
            Movement::Right => (1, 0),
            Movement::DownRight => (1, 1),
            Movement::Down => (0, 1),
            Movement::DownLeft => (-1, 1),
            Movement::Left => (-1, 0),
            Movement::UpLeft => (-1, -1),
            Movement::Stop => (0, 0),
        }
    }

    pub fn components(self) -> (c: (i8, i8))
        ensures
            c.0 == self.spec_components().0,
            c.1 == self.spec_components().1,
    {
        match self {
            Movement::Up => (0, -1),
            Movement::UpRight => (1, -1),
            Movement::Right => (1, 0),
            Movement::DownRight => (1, 1),
            Movement::Down => (0, 1),
            Movement::DownLeft => (-1, 1),
            Movement::Left => (-1, 0),
            Movement::UpLeft => (-1, -1),
            Movement::Stop => (0, 0),
        }
    }
}

} // verus!
