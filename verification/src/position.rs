use vstd::prelude::*;
use vstd::std_specs::ops::AddSpecImpl;
use vstd::std_specs::ops::SubSpecImpl;
use crate::error::GameError;

verus! {

/// A cell coordinate: `x` counts columns from the left, `y` rows from the top.
#[derive(Clone, Copy, Debug, PartialEq, Eq, Structural)]
pub struct Position {
    pub x: u16,
    pub y: u16,
}

impl Default for Position {
    fn default() -> (origin: Position)
        ensures
            origin == (Position { x: 0, y: 0 }),
    {
        Position { x: 0, y: 0 }
    }
}

impl Position {
    /// Whether the position lies on a grid of `width` columns and `height` rows.
    pub open spec fn within(self, width: int, height: int) -> bool {
        self.x < width && self.y < height
    }

    /// The image of the position under a quarter turn about the point whose
    /// two coordinates are both `doubled_pivot / 2`: `x` becomes
    /// `doubled_pivot - y`, held at zero where that would be negative, and
    /// `y` becomes the old `x`.
    pub open spec fn rotated(self, doubled_pivot: u16) -> Position {
        Position {
            x: if doubled_pivot >= self.y { (doubled_pivot - self.y) as u16 } else { 0 },
            y: self.x,
        }
    }

    /// Accepts a position on the grid and reports any other with its coordinates.
    pub fn check_within_bounds(&self, width: u16, height: u16) -> (outcome: Result<(), GameError>)
        ensures
            self.within(width as int, height as int) ==> outcome == Ok::<(), GameError>(()),
            !self.within(width as int, height as int) ==> outcome == Err::<(), GameError>(
                GameError::OutOfBounds { x: self.x as u32, y: self.y as u32 },
            ),
    {
        if self.x >= width || self.y >= height {
            Err(GameError::OutOfBounds { x: self.x as u32, y: self.y as u32 })
        } else {
            Ok(())
        }
    }

    /// Turns the position by a quarter about the pivot, in place.
    pub fn rotate_around_pivot(&mut self, doubled_pivot: u16)
        ensures
            *final(self) == old(self).rotated(doubled_pivot),
    {
        let temp_x: u16 = self.x;
        self.x = if doubled_pivot >= self.y { doubled_pivot - self.y } else { 0 };
        self.y = temp_x;
    }
}

impl core::ops::Add for Position {
    type Output = Position;

    fn add(self, rhs: Position) -> (sum: Position) {
        Position { x: self.x + rhs.x, y: self.y + rhs.y }
    }
}

impl AddSpecImpl for Position {
    open spec fn obeys_add_spec() -> bool {
        true
    }

    open spec fn add_req(self, rhs: Position) -> bool {
        self.x + rhs.x <= u16::MAX && self.y + rhs.y <= u16::MAX
    }

    open spec fn add_spec(self, rhs: Position) -> Position {
        Position { x: (self.x + rhs.x) as u16, y: (self.y + rhs.y) as u16 }
    }
}

impl core::ops::Sub for Position {
    type Output = Position;

    fn sub(self, rhs: Position) -> (difference: Position) {
        Position { x: self.x - rhs.x, y: self.y - rhs.y }
    }
}

impl SubSpecImpl for Position {
    open spec fn obeys_sub_spec() -> bool {
        true
    }

    open spec fn sub_req(self, rhs: Position) -> bool {
        rhs.x <= self.x && rhs.y <= self.y
    }

    open spec fn sub_spec(self, rhs: Position) -> Position {
        Position { x: (self.x - rhs.x) as u16, y: (self.y - rhs.y) as u16 }
    }
}

} // verus!
